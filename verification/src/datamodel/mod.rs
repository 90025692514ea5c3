//! The models of a schema as replication sees them: how each is replicated,
//! which fields identify its records on every node, and which records its
//! fields refer to.

use vstd::prelude::*;
use vstd::string::StringExecFns;

pub mod error;
pub mod field;
pub mod model;
pub mod schema;
pub mod source;

use crate::datamodel::error::DatamodelError;
use crate::datamodel::error::DatamodelErrorView;
use crate::datamodel::field::field_names;
use crate::datamodel::field::find_field;
use crate::datamodel::field::Field;
use crate::datamodel::field::FieldRef;
use crate::datamodel::field::FieldType;
use crate::datamodel::field::RelationFieldInfo;
use crate::datamodel::model::Model;
use crate::datamodel::source::DatamodelSource;
use crate::datamodel::source::ModelSource;
use crate::names::find_name;
use crate::names::first_of;
use crate::names::lemma_first;
use crate::names::strings_view;

verus! {

#[derive(Clone, Debug, PartialEq, Eq)]
pub struct Datamodel {
    pub models: Vec<Model>,
}

/// Whether a model has the name of one of the models that hold operations,
/// which are not replicated themselves.
pub open spec fn internal(name: Seq<char>) -> bool {
    name == "OwnedOperation"@ || name == "SharedOperation"@ || name == "RelationOperation"@
}

pub fn is_internal(name: &String) -> (b: bool)
    ensures
        b == internal(name@),
{
    *name == String::from_str("OwnedOperation") || *name == String::from_str("SharedOperation") || *name
        == String::from_str("RelationOperation")
}

/// The names of a list of models.
pub open spec fn model_names(models: Seq<Model>) -> Seq<Seq<char>> {
    Seq::new(models.len(), |i: int| models[i].name@)
}

/// The first model of that name.
pub fn find_model(models: &Vec<Model>, name: &String) -> (r: Option<usize>)
    ensures
        match r {
            Some(i) => first_of(model_names(models@), name@) == Some(i as int) && i < models@.len(),
            None => first_of(model_names(models@), name@).is_none(),
        },
{
    let mut i: usize = 0;
    while i < models.len()
        invariant
            i <= models@.len(),
            forall|j: int| 0 <= j < i ==> model_names(models@)[j] != name@,
        decreases models@.len() - i,
    {
        if models[i].name == *name {
            proof {
                assert(model_names(models@)[i as int] == name@);
                lemma_first(model_names(models@), name@, i as int);
            }
            return Some(i);
        }
        i += 1;
    }
    None
}

/// What the scalar field of name `name` refers to through the field at
/// position `k` of its model: where that is a relation field that holds the
/// scalar as part of its key, the field of the other model that stands at
/// the same place among the fields the relation refers to.
pub open spec fn link_through(name: Seq<char>, fields: Seq<Field>, k: int, models: Seq<Model>) -> Option<
    RelationFieldInfo,
> {
    match fields[k].typ {
        FieldType::Relation { relation_info } => match first_of(strings_view(relation_info.fields@), name) {
            Some(place) => match first_of(model_names(models), relation_info.to@) {
                Some(m) => if place < relation_info.references@.len() {
                    match first_of(field_names(models[m].fields@), relation_info.references@[place]@) {
                        Some(f) => Some(
                            RelationFieldInfo {
                                relation: k as usize,
                                referenced_field: FieldRef { model: m as usize, field: f as usize },
                            },
                        ),
                        None => None,
                    }
                } else {
                    None
                },
                None => None,
            },
            None => None,
        },
        _ => None,
    }
}

/// What the scalar field of name `name` refers to through the first field
/// from position `k` on through which it refers to anything.
pub open spec fn link_from(name: Seq<char>, fields: Seq<Field>, k: int, models: Seq<Model>) -> Option<
    RelationFieldInfo,
>
    decreases fields.len() - k,
{
    if k < 0 || k >= fields.len() {
        None
    } else {
        match link_through(name, fields, k, models) {
            Some(info) => Some(info),
            None => link_from(name, fields, k + 1, models),
        }
    }
}

impl Field {
    /// What this field refers to, as a field of `model`: nothing if it is a
    /// relation field.
    pub open spec fn link(&self, model: &Model, datamodel: &Datamodel) -> Option<RelationFieldInfo> {
        if self.typ is Scalar {
            link_from(self.name@, model.fields@, 0, datamodel.models@)
        } else {
            None
        }
    }

    /// Finds what this field refers to, as a field of `model`.
    pub fn resolve_relations(&self, model: &Model, datamodel: &Datamodel) -> (r: Option<RelationFieldInfo>)
        ensures
            r == self.link(model, datamodel),
            r matches Some(info) ==> info.relation < model.fields@.len() && info.referenced_field.model
                < datamodel.models@.len() && info.referenced_field.field
                < datamodel.models@[info.referenced_field.model as int].fields@.len(),
    {
        if !self.is_scalar() {
            return None;
        }
        let mut k: usize = 0;
        while k < model.fields.len()
            invariant
                k <= model.fields@.len(),
                self.typ is Scalar,
                link_from(self.name@, model.fields@, 0, datamodel.models@) == link_from(
                    self.name@,
                    model.fields@,
                    k as int,
                    datamodel.models@,
                ),
            decreases model.fields@.len() - k,
        {
            match &model.fields[k].typ {
                FieldType::Relation { relation_info } => {
                    match find_name(&relation_info.fields, &self.name) {
                        Some(place) => match find_model(&datamodel.models, &relation_info.to) {
                            Some(m) => {
                                if place < relation_info.references.len() {
                                    match find_field(&datamodel.models[m].fields, &relation_info.references[place]) {
                                        Some(f) => {
                                            return Some(
                                                RelationFieldInfo::new(k, FieldRef { model: m, field: f }),
                                            );
                                        },
                                        None => {},
                                    }
                                }
                            },
                            None => {},
                        },
                        None => {},
                    }
                },
                _ => {},
            }
            k += 1;
        }
        None
    }

    /// Whether two fields are the same but for what they refer to.
    pub open spec fn alike(&self, other: &Field) -> bool {
        &&& self.name == other.name
        &&& self.name_snake == other.name_snake
        &&& self.name_pascal == other.name_pascal
        &&& self.arity == other.arity
        &&& self.required_on_create == other.required_on_create
        &&& match other.typ {
            FieldType::Scalar { .. } => self.typ is Scalar,
            FieldType::Relation { .. } => self.typ == other.typ,
        }
    }
}

impl Model {
    /// Whether two models are the same but for what their fields refer to.
    pub open spec fn alike(&self, other: &Model) -> bool {
        &&& self.name == other.name
        &&& self.name_snake == other.name_snake
        &&& self.typ == other.typ
        &&& self.fields@.len() == other.fields@.len()
        &&& forall|j: int| 0 <= j < self.fields@.len() ==> (#[trigger] self.fields@[j]).alike(&other.fields@[j])
    }

    /// Finds what each field of this model refers to.
    pub fn resolve_relations(&self, datamodel: &Datamodel) -> (r: Vec<Option<RelationFieldInfo>>)
        ensures
            r@.len() == self.fields@.len(),
            forall|j: int| 0 <= j < r@.len() ==> #[trigger] r@[j] == self.fields@[j].link(self, datamodel),
    {
        let mut links: Vec<Option<RelationFieldInfo>> = Vec::new();
        let mut j: usize = 0;
        while j < self.fields.len()
            invariant
                j <= self.fields@.len(),
                links@.len() == j,
                forall|i: int| 0 <= i < j ==> #[trigger] links@[i] == self.fields@[i].link(self, datamodel),
            decreases self.fields@.len() - j,
        {
            links.push(self.fields[j].resolve_relations(self, datamodel));
            j += 1;
        }
        links
    }
}

/// Models that are alike give the same answers to what a field refers to.
pub proof fn lemma_link_alike(name: Seq<char>, fields: Seq<Field>, other_fields: Seq<Field>, k: int, models: Seq<
    Model,
>, other_models: Seq<Model>)
    requires
        fields.len() == other_fields.len(),
        forall|j: int| 0 <= j < fields.len() ==> (#[trigger] fields[j]).alike(&other_fields[j]),
        models.len() == other_models.len(),
        forall|i: int| 0 <= i < models.len() ==> (#[trigger] models[i]).alike(&other_models[i]),
    ensures
        link_from(name, fields, k, models) == link_from(name, other_fields, k, other_models),
    decreases fields.len() - k,
{
    if 0 <= k < fields.len() {
        assert(fields[k].alike(&other_fields[k]));
        assert(model_names(models) =~= model_names(other_models)) by {
            assert forall|i: int| 0 <= i < models.len() implies model_names(models)[i] == model_names(
                other_models,
            )[i] by {
                assert(models[i].alike(&other_models[i]));
            }
        }
        match fields[k].typ {
            FieldType::Relation { relation_info } => {
                match first_of(model_names(models), relation_info.to@) {
                    Some(m) => {
                        assert(models[m].alike(&other_models[m]));
                        assert(field_names(models[m].fields@) =~= field_names(other_models[m].fields@)) by {
                            assert forall|j: int| 0 <= j < models[m].fields@.len() implies field_names(
                                models[m].fields@,
                            )[j] == field_names(other_models[m].fields@)[j] by {
                                assert(models[m].fields@[j].alike(&other_models[m].fields@[j]));
                            }
                        }
                    },
                    None => {},
                }
            },
            _ => {},
        }
        lemma_link_alike(name, fields, other_fields, k + 1, models, other_models);
    }
}

impl Datamodel {
    /// Each scalar field holds what it refers to.
    pub open spec fn linked(&self) -> bool {
        forall|i: int, j: int|
            0 <= i < self.models@.len() && 0 <= j < self.models@[i].fields@.len() ==> (
            #[trigger] self.models@[i].fields@[j].typ matches FieldType::Scalar { relation_field_info }
                ==> relation_field_info == link_from(
                self.models@[i].fields@[j].name@,
                self.models@[i].fields@,
                0,
                self.models@,
            ))
    }

    /// Whether two data models are the same but for what their fields refer
    /// to.
    pub open spec fn alike(&self, other: &Datamodel) -> bool {
        &&& self.models@.len() == other.models@.len()
        &&& forall|i: int| 0 <= i < self.models@.len() ==> (#[trigger] self.models@[i]).alike(&other.models@[i])
    }

    /// Finds what each scalar field refers to and notes it in the field.
    pub fn resolve_relations(&mut self)
        ensures
            final(self).alike(old(self)),
            final(self).linked(),
    {
        let ghost start = *self;
        let mut i: usize = 0;
        while i < self.models.len()
            invariant
                i <= self.models@.len(),
                self.alike(&start),
                forall|a: int, b: int|
                    0 <= a < i && 0 <= b < self.models@[a].fields@.len() ==> (
                    #[trigger] self.models@[a].fields@[b].typ matches FieldType::Scalar { relation_field_info }
                        ==> relation_field_info == link_from(
                        start.models@[a].fields@[b].name@,
                        start.models@[a].fields@,
                        0,
                        start.models@,
                    )),
            decreases self.models@.len() - i,
        {
            let links = self.models[i].resolve_relations(self);
            let ghost before = *self;
            let mut j: usize = 0;
            while j < links.len()
                invariant
                    i < self.models@.len(),
                    j <= links@.len(),
                    links@.len() == self.models@[i as int].fields@.len(),
                    self.alike(&start),
                    before.alike(&start),
                    self.alike(&before),
                    forall|b: int|
                        0 <= b < links@.len() ==> #[trigger] links@[b] == before.models@[i as int].fields@[b].link(
                            &before.models@[i as int],
                            &before,
                        ),
                    forall|a: int, b: int|
                        0 <= a < i && 0 <= b < self.models@[a].fields@.len() ==> (
                        #[trigger] self.models@[a].fields@[b].typ matches FieldType::Scalar { relation_field_info }
                            ==> relation_field_info == link_from(
                            start.models@[a].fields@[b].name@,
                            start.models@[a].fields@,
                            0,
                            start.models@,
                        )),
                    forall|b: int|
                        0 <= b < j ==> (
                        #[trigger] self.models@[i as int].fields@[b].typ matches FieldType::Scalar {
                            relation_field_info,
                        } ==> relation_field_info == link_from(
                            start.models@[i as int].fields@[b].name@,
                            start.models@[i as int].fields@,
                            0,
                            start.models@,
                        )),
                decreases links@.len() - j,
            {
                let ghost prior = *self;
                if self.models[i].fields[j].is_scalar() {
                    proof {
                        assert(before.models@[i as int].alike(&start.models@[i as int]));
                        assert(self.models@[i as int].alike(&before.models@[i as int]));
                        assert(self.models@[i as int].fields@[j as int].alike(
                            &before.models@[i as int].fields@[j as int],
                        ));
                        assert(before.models@[i as int].fields@[j as int].alike(
                            &start.models@[i as int].fields@[j as int],
                        ));
                        lemma_link_alike(
                            before.models@[i as int].fields@[j as int].name@,
                            before.models@[i as int].fields@,
                            start.models@[i as int].fields@,
                            0,
                            before.models@,
                            start.models@,
                        );
                    }
                    self.models[i].fields[j].typ = FieldType::Scalar { relation_field_info: links[j] };
                    proof {
                        assert forall|a: int| 0 <= a < self.models@.len() implies (#[trigger] self.models@[a]).alike(
                            &prior.models@[a],
                        ) by {
                            if a == i {
                                assert forall|b: int| 0 <= b < self.models@[a].fields@.len() implies (
                                #[trigger] self.models@[a].fields@[b]).alike(&prior.models@[a].fields@[b]) by {}
                            } else {
                                assert(self.models@[a] == prior.models@[a]);
                            }
                        }
                        lemma_alike_chain(self, &prior, &start);
                        lemma_alike_chain(self, &prior, &before);
                    }
                }
                j += 1;
            }
            i += 1;
        }
        proof {
            assert forall|a: int, b: int|
                0 <= a < self.models@.len() && 0 <= b < self.models@[a].fields@.len() implies (
            #[trigger] self.models@[a].fields@[b].typ matches FieldType::Scalar { relation_field_info }
                ==> relation_field_info == link_from(
                self.models@[a].fields@[b].name@,
                self.models@[a].fields@,
                0,
                self.models@,
            )) by {
                assert(self.models@[a].alike(&start.models@[a]));
                assert(self.models@[a].fields@[b].alike(&start.models@[a].fields@[b]));
                lemma_link_alike(
                    self.models@[a].fields@[b].name@,
                    self.models@[a].fields@,
                    start.models@[a].fields@,
                    0,
                    self.models@,
                    start.models@,
                );
            }
        }
    }
}

/// Being alike carries over.
pub proof fn lemma_alike_chain(a: &Datamodel, b: &Datamodel, c: &Datamodel)
    requires
        a.alike(b),
        b.alike(c),
    ensures
        a.alike(c),
{
    assert forall|i: int| 0 <= i < a.models@.len() implies (#[trigger] a.models@[i]).alike(&c.models@[i]) by {
        assert(a.models@[i].alike(&b.models@[i]));
        assert(b.models@[i].alike(&c.models@[i]));
        assert forall|j: int| 0 <= j < a.models@[i].fields@.len() implies (#[trigger] a.models@[i].fields@[j]).alike(
            &c.models@[i].fields@[j],
        ) by {
            assert(a.models@[i].fields@[j].alike(&b.models@[i].fields@[j]));
            assert(b.models@[i].fields@[j].alike(&c.models@[i].fields@[j]));
        }
    }
}

/// The positions, from `k` on, of the models that are replicated, which is
/// all but the models that hold operations.
pub open spec fn kept_from(models: Seq<ModelSource>, k: int) -> Seq<int>
    decreases models.len() - k,
{
    if k < 0 || k >= models.len() {
        seq![]
    } else if internal(models[k].name@) {
        kept_from(models, k + 1)
    } else {
        seq![k] + kept_from(models, k + 1)
    }
}

/// Why the first model from `k` on that cannot be read cannot be read.
pub open spec fn error_from(models: Seq<ModelSource>, k: int) -> Option<DatamodelErrorView>
    decreases models.len() - k,
{
    if k < 0 || k >= models.len() {
        None
    } else if internal(models[k].name@) {
        error_from(models, k + 1)
    } else {
        match Model::error_of(&models[k]) {
            Some(e) => Some(e),
            None => error_from(models, k + 1),
        }
    }
}

/// A model that is like one that was made of a source is made of it.
pub proof fn lemma_made_alike(model: &Model, first: &Model, source: &ModelSource)
    requires
        model.alike(first),
        first.made_of(source),
    ensures
        model.made_of(source),
{
    reveal(Model::made_of);
    assert forall|i: int| 0 <= i < model.fields@.len() implies (#[trigger] model.fields@[i]).made_of(
        &source.fields@[i],
    ) by {
        assert(model.fields@[i].alike(&first.fields@[i]));
        assert(first.fields@[i].made_of(&source.fields@[i]));
    }
}

impl Datamodel {
    /// Reads a schema: the models that are replicated, in their order, each
    /// scalar field with what it refers to. Where a model cannot be read, the
    /// first such model's error is returned.
    pub fn try_from(source: &DatamodelSource) -> (r: Result<Datamodel, DatamodelError>)
        ensures
            match r {
                Ok(datamodel) => {
                    let kept = kept_from(source.models@, 0);
                    &&& error_from(source.models@, 0).is_none()
                    &&& datamodel.models@.len() == kept.len()
                    &&& forall|n: int|
                        0 <= n < kept.len() ==> 0 <= #[trigger] kept[n] < source.models@.len()
                            && datamodel.models@[n].made_of(&source.models@[kept[n]])
                    &&& datamodel.linked()
                },
                Err(e) => error_from(source.models@, 0) == Some(e@),
            },
    {
        let mut models: Vec<Model> = Vec::new();
        let ghost mut done: Seq<int> = seq![];
        let mut k: usize = 0;
        while k < source.models.len()
            invariant
                k <= source.models@.len(),
                models@.len() == done.len(),
                kept_from(source.models@, 0) == done + kept_from(source.models@, k as int),
                error_from(source.models@, 0) == error_from(source.models@, k as int),
                forall|n: int|
                    0 <= n < done.len() ==> 0 <= #[trigger] done[n] < source.models@.len() && models@[n].made_of(
                        &source.models@[done[n]],
                    ),
            decreases source.models@.len() - k,
        {
            if !is_internal(&source.models[k].name) {
                match Model::new(&source.models[k]) {
                    Ok(model) => {
                        proof {
                            assert(done + (seq![k as int] + kept_from(source.models@, k + 1)) =~= done.push(k as int)
                                + kept_from(source.models@, k + 1));
                            done = done.push(k as int);
                        }
                        models.push(model);
                    },
                    Err(e) => {
                        return Err(e);
                    },
                }
            }
            k += 1;
        }
        assert(done + Seq::<int>::empty() =~= done);
        let mut datamodel = Datamodel { models };
        let ghost first = datamodel;
        datamodel.resolve_relations();
        proof {
            assert forall|n: int| 0 <= n < done.len() implies datamodel.models@[n].made_of(
                &source.models@[#[trigger] done[n]],
            ) by {
                assert(datamodel.models@[n].alike(&first.models@[n]));
                lemma_made_alike(&datamodel.models@[n], &first.models@[n], &source.models@[done[n]]);
            }
        }
        Ok(datamodel)
    }

    /// The first model of that name.
    pub fn model(&self, name: &String) -> (r: Option<usize>)
        ensures
            match r {
                Some(i) => first_of(model_names(self.models@), name@) == Some(i as int) && i < self.models@.len(),
                None => first_of(model_names(self.models@), name@).is_none(),
            },
    {
        find_model(&self.models, name)
    }
}

} // verus!
