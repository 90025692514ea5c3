//! Names in the forms that generated code uses, and handles on the models
//! and fields of a data model.

use convert_case::Case;
use convert_case::Casing;
use vstd::prelude::*;
use crate::datamodel::field::field_names;
use crate::datamodel::field::FieldRef;
use crate::datamodel::model::Model;
use crate::datamodel::Datamodel;
use crate::names::first_of;

verus! {

/// A name in snake case, as `convert_case` writes it.
pub uninterp spec fn snake_case(name: Seq<char>) -> Seq<char>;

/// A name in Pascal case, as `convert_case` writes it.
pub uninterp spec fn pascal_case(name: Seq<char>) -> Seq<char>;

/// The name in snake case. This calls `Casing::to_case` of `convert_case`
/// with `Case::Snake`; what it returns depends on the name alone and is
/// known here only as `snake_case` of the name.
#[verifier::external_body]
pub fn snake_ident(name: &str) -> (r: String)
    ensures
        r@ == snake_case(name@),
{
    name.to_case(Case::Snake)
}

/// The name in Pascal case. This calls `Casing::to_case` of `convert_case`
/// with `Case::Pascal`; what it returns depends on the name alone and is
/// known here only as `pascal_case` of the name.
#[verifier::external_body]
pub fn pascal_ident(name: &str) -> (r: String)
    ensures
        r@ == pascal_case(name@),
{
    name.to_case(Case::Pascal)
}

/// A data model, as a handle that can be copied.
#[derive(Clone, Copy)]
pub struct DatamodelRef<'a>(pub &'a Datamodel);

/// A model together with the data model that it is a part of.
#[derive(Clone, Copy)]
pub struct ModelRef<'a> {
    pub index: usize,
    pub datamodel: DatamodelRef<'a>,
}

impl<'a> DatamodelRef<'a> {
    /// The models of the data model, in their order.
    pub fn models(&self) -> (r: Vec<ModelRef<'a>>)
        ensures
            r@.len() == self.0.models@.len(),
            forall|i: int| 0 <= i < r@.len() ==> (#[trigger] r@[i]).index == i && r@[i].datamodel.0 == self.0,
    {
        let mut r: Vec<ModelRef<'a>> = Vec::new();
        let mut i: usize = 0;
        while i < self.0.models.len()
            invariant
                i <= self.0.models@.len(),
                r@.len() == i,
                forall|j: int| 0 <= j < i ==> (#[trigger] r@[j]).index == j && r@[j].datamodel.0 == self.0,
            decreases self.0.models@.len() - i,
        {
            r.push(ModelRef::new(i, *self));
            i += 1;
        }
        r
    }
}

impl<'a> ModelRef<'a> {
    pub fn new(index: usize, datamodel: DatamodelRef<'a>) -> (r: Self)
        ensures
            r.index == index,
            r.datamodel.0 == datamodel.0,
    {
        ModelRef { index, datamodel }
    }

    pub open spec fn wf(&self) -> bool {
        self.index < self.datamodel.0.models@.len()
    }

    /// The model that the handle is on.
    pub fn model(&self) -> (m: &'a Model)
        requires
            self.wf(),
        ensures
            *m == self.datamodel.0.models@[self.index as int],
    {
        &self.datamodel.0.models[self.index]
    }

    /// The fields of the model, in their order.
    pub fn fields(&self) -> (r: Vec<FieldRef>)
        requires
            self.wf(),
        ensures
            r@.len() == self.datamodel.0.models@[self.index as int].fields@.len(),
            forall|i: int| 0 <= i < r@.len() ==> #[trigger] r@[i] == (FieldRef { model: self.index, field: i as usize }),
    {
        let model = self.model();
        let mut r: Vec<FieldRef> = Vec::new();
        let mut i: usize = 0;
        while i < model.fields.len()
            invariant
                i <= model.fields@.len(),
                r@.len() == i,
                forall|j: int| 0 <= j < i ==> #[trigger] r@[j] == (FieldRef { model: self.index, field: j as usize }),
            decreases model.fields@.len() - i,
        {
            r.push(FieldRef { model: self.index, field: i });
            i += 1;
        }
        r
    }

    /// The first field of that name.
    pub fn field(&self, name: &String) -> (r: Option<FieldRef>)
        requires
            self.wf(),
        ensures
            match first_of(field_names(self.datamodel.0.models@[self.index as int].fields@), name@) {
                Some(i) => r == Some(FieldRef { model: self.index, field: i as usize }),
                None => r.is_none(),
            },
    {
        match self.model().field(name) {
            Some(i) => Some(FieldRef { model: self.index, field: i }),
            None => None,
        }
    }
}

impl FieldRef {
    pub fn new(field: usize, model: ModelRef) -> (r: Self)
        ensures
            r == (FieldRef { model: model.index, field }),
    {
        FieldRef { model: model.index, field }
    }
}

} // verus!
